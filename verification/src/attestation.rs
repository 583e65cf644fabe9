//! The events that describe a workload in the attestation evidence.

use crate::hash;
use crate::hash::sha256;
use crate::message;
use crate::policy;
use crate::proto::attestation;
use crate::proto::attestation::{
    Any, ContainerLayerData, Event, RawDigest, SystemLayerData, WasmWorkloadLayerData,
};
use crate::wire;
use vstd::prelude::*;

verus! {

/// Tag of the event that describes the system image.
pub const SYSTEM_TAG: &'static str = "stage1";

/// Tag of the event that describes the workload.
pub const WORKLOAD_TAG: &'static str = "ORCHESTRATOR";

/// Type URL of the system image event.
pub const SYSTEM_LAYER_DATA_TYPE_URL: &'static str = "type.googleapis.com/oak.attestation.v1.SystemLayerData";

/// Type URL of the classic container workload event.
pub const CONTAINER_LAYER_DATA_TYPE_URL: &'static str = "type.googleapis.com/oak.attestation.v1.ContainerLayerData";

/// Type URL of the event a capability-based wasm workload emits.
pub const WASM_WORKLOAD_LAYER_DATA_TYPE_URL: &'static str = "type.googleapis.com/oak.attestation.v1.WasmWorkloadLayerData";

// ---------------------------------------------------------------------------
// Keys
// ---------------------------------------------------------------------------

/// The uncompressed SEC1 encoding of the P-256 point that a SEC1 encoding stands
/// for, where it stands for one.
pub uninterp spec fn sec1_point(bytes: Seq<u8>) -> Option<Seq<u8>>;

/// Calls `p256::ecdsa::VerifyingKey::from_sec1_bytes` and, on the key,
/// `p256::ecdsa::VerifyingKey::to_sec1_bytes`. Claimed: whether the bytes are a
/// key, and what its uncompressed encoding is, is a function of the bytes.
#[verifier::external_body]
fn uncompressed(bytes: &[u8]) -> (r: Option<Vec<u8>>)
    ensures
        r is Some <==> sec1_point(bytes@) is Some,
        r matches Some(point) ==> sec1_point(bytes@) == Some(point@),
{
    let key = p256::ecdsa::VerifyingKey::from_sec1_bytes(bytes).ok()?;
    Some(key.to_sec1_bytes().to_vec())
}

/// A P-256 verification key.
#[derive(Debug, Clone)]
pub struct VerificationKey {
    sec1: Vec<u8>,
}

impl VerificationKey {
    /// The uncompressed SEC1 encoding of the key.
    pub closed spec fn point(&self) -> Seq<u8> {
        self.sec1@
    }

    /// Reads a key.
    pub fn from_sec1_bytes(bytes: &[u8]) -> (r: Option<VerificationKey>)
        ensures
            r is Some <==> sec1_point(bytes@) is Some,
            r matches Some(k) ==> sec1_point(bytes@) == Some(k.point()),
    {
        match uncompressed(bytes) {
            Some(sec1) => Some(VerificationKey { sec1 }),
            None => None,
        }
    }

    /// Encodes the key.
    pub fn to_sec1_bytes(&self) -> (bytes: Vec<u8>)
        ensures
            bytes@ == self.point(),
    {
        vstd::slice::slice_to_vec(self.sec1.as_slice())
    }
}

/// The public keys of a workload instance.
pub struct InstancePublicKeys {
    pub encryption_public_key: Vec<u8>,
    pub signing_public_key: VerificationKey,
    pub session_binding_public_key: VerificationKey,
}

/// The public keys of a group of instances.
#[derive(Debug, Clone)]
pub struct GroupPublicKeys {
    pub encryption_public_key: Vec<u8>,
}

// ---------------------------------------------------------------------------
// Events
// ---------------------------------------------------------------------------

/// The digest of some bytes.
pub open spec fn measured(bytes: Seq<u8>) -> attestation::RawDigestView {
    attestation::RawDigestView { sha2_256: hash::sha256_digest(bytes) }
}

/// Measures some bytes.
fn measure_digest(bytes: &[u8]) -> (d: RawDigest)
    ensures
        d@ == measured(bytes@),
{
    RawDigest { sha2_256: sha256(bytes) }
}

/// An event with its payload.
pub open spec fn event_view(
    tag: Seq<char>,
    type_url: Seq<char>,
    value: Seq<u8>,
) -> attestation::EventView {
    attestation::EventView { tag, event: Some(attestation::AnyView { type_url, value }) }
}

fn event_of(tag: &str, type_url: &str, value: Vec<u8>) -> (e: Event)
    ensures
        e@ == event_view(tag@, type_url@, value@),
{
    Event { tag: tag.to_string(), event: Some(Any { type_url: type_url.to_string(), value }) }
}

/// The event that measures a system image.
pub open spec fn system_event(system_image: Seq<u8>) -> attestation::EventView {
    event_view(
        SYSTEM_TAG@,
        SYSTEM_LAYER_DATA_TYPE_URL@,
        message::encoding::<SystemLayerData>(
            attestation::SystemLayerDataView { system_image: Some(measured(system_image)) },
        ),
    )
}

/// Measures the system image and returns a corresponding event log entry.
pub fn create_system_layer_event(system_image: &[u8]) -> (e: Event)
    ensures
        e@ == system_event(system_image@),
{
    let data = SystemLayerData { system_image: Some(measure_digest(system_image)) };
    assert(data@ =~= (attestation::SystemLayerDataView {
        system_image: Some(measured(system_image@)),
    }));
    event_of(SYSTEM_TAG, SYSTEM_LAYER_DATA_TYPE_URL, message::encode(&data))
}

/// What a container event says.
pub open spec fn container_data(
    container: Seq<u8>,
    config: Seq<u8>,
    keys: InstancePublicKeys,
) -> attestation::ContainerLayerDataView {
    attestation::ContainerLayerDataView {
        bundle: Some(measured(container)),
        config: Some(measured(config)),
        hybrid_encryption_public_key: keys.encryption_public_key@,
        signing_public_key: keys.signing_public_key.point(),
        session_binding_public_key: keys.session_binding_public_key.point(),
    }
}

/// The event that describes a container.
pub open spec fn container_event(
    container: Seq<u8>,
    config: Seq<u8>,
    keys: InstancePublicKeys,
) -> attestation::EventView {
    event_view(
        WORKLOAD_TAG@,
        CONTAINER_LAYER_DATA_TYPE_URL@,
        message::encoding::<ContainerLayerData>(container_data(container, config, keys)),
    )
}

/// Creates a container event that holds the measurements of the image and of the
/// configuration, and the public keys used by the container.
pub fn create_container_event(
    container_bytes: &[u8],
    config_bytes: &[u8],
    instance_public_keys: &InstancePublicKeys,
) -> (e: Event)
    ensures
        e@ == container_event(container_bytes@, config_bytes@, *instance_public_keys),
{
    let data = ContainerLayerData {
        bundle: Some(measure_digest(container_bytes)),
        config: Some(measure_digest(config_bytes)),
        hybrid_encryption_public_key: vstd::slice::slice_to_vec(
            instance_public_keys.encryption_public_key.as_slice(),
        ),
        signing_public_key: instance_public_keys.signing_public_key.to_sec1_bytes(),
        session_binding_public_key: instance_public_keys.session_binding_public_key.to_sec1_bytes(),
    };
    assert(data@ =~= container_data(container_bytes@, config_bytes@, *instance_public_keys));
    event_of(WORKLOAD_TAG, CONTAINER_LAYER_DATA_TYPE_URL, message::encode(&data))
}

/// What a wasm workload event says.
pub open spec fn wasm_workload_data(
    bundle: Seq<u8>,
    config: Seq<u8>,
    capability_claim: Seq<u8>,
    keys: InstancePublicKeys,
) -> attestation::WasmWorkloadLayerDataView {
    attestation::WasmWorkloadLayerDataView {
        bundle: Some(measured(bundle)),
        config: Some(measured(config)),
        hybrid_encryption_public_key: keys.encryption_public_key@,
        signing_public_key: keys.signing_public_key.point(),
        session_binding_public_key: keys.session_binding_public_key.point(),
        capability_claim,
    }
}

/// The event that describes a wasm workload.
pub open spec fn wasm_workload_event(
    bundle: Seq<u8>,
    config: Seq<u8>,
    capability_claim: Seq<u8>,
    keys: InstancePublicKeys,
) -> attestation::EventView {
    event_view(
        WORKLOAD_TAG@,
        WASM_WORKLOAD_LAYER_DATA_TYPE_URL@,
        message::encoding::<WasmWorkloadLayerData>(
            wasm_workload_data(bundle, config, capability_claim, keys),
        ),
    )
}

/// Creates a wasm workload event that holds the measurements of the bundle and of
/// the configuration, the public keys of the instance, and the capability claim
/// that describes what the composition can do. The claim is carried verbatim.
pub fn create_wasm_workload_event(
    bundle_bytes: &[u8],
    config_bytes: &[u8],
    capability_claim: Vec<u8>,
    instance_public_keys: &InstancePublicKeys,
) -> (e: Event)
    ensures
        e@ == wasm_workload_event(
            bundle_bytes@,
            config_bytes@,
            capability_claim@,
            *instance_public_keys,
        ),
{
    let data = WasmWorkloadLayerData {
        bundle: Some(measure_digest(bundle_bytes)),
        config: Some(measure_digest(config_bytes)),
        hybrid_encryption_public_key: vstd::slice::slice_to_vec(
            instance_public_keys.encryption_public_key.as_slice(),
        ),
        signing_public_key: instance_public_keys.signing_public_key.to_sec1_bytes(),
        session_binding_public_key: instance_public_keys.session_binding_public_key.to_sec1_bytes(),
        capability_claim,
    };
    assert(data@ =~= wasm_workload_data(
        bundle_bytes@,
        config_bytes@,
        capability_claim@,
        *instance_public_keys,
    ));
    event_of(WORKLOAD_TAG, WASM_WORKLOAD_LAYER_DATA_TYPE_URL, message::encode(&data))
}

// ---------------------------------------------------------------------------
// The DICE layer
// ---------------------------------------------------------------------------

/// The numbers that the certificate format gives to the claims of a layer.
#[derive(Debug, Clone, Copy, PartialEq, Eq, Structural)]
pub struct ClaimIds {
    /// The claim that measures an event.
    pub event: i64,
    /// The entry for a SHA2-256 digest.
    pub sha2_256: i64,
}

/// A claim that maps the number of a hash function to a digest.
#[derive(Debug, Clone)]
pub struct DigestClaim {
    /// A private-use claim number.
    pub claim: i64,
    pub hash: i64,
    pub digest: Vec<u8>,
}

/// What a layer adds to its certificate and to the event log.
#[derive(Debug, Clone)]
pub struct LayerData {
    pub additional_claims: Vec<DigestClaim>,
    pub encoded_event: Vec<u8>,
}

/// Measures the event and returns the measurement as an additional claim.
pub fn create_container_dice_layer(event: &Event, ids: ClaimIds) -> (layer: LayerData)
    ensures
        layer.encoded_event@ == message::encoding::<Event>(event@),
        layer.additional_claims@.len() == 1,
        layer.additional_claims@[0].claim == ids.event,
        layer.additional_claims@[0].hash == ids.sha2_256,
        layer.additional_claims@[0].digest@ == hash::sha256_digest(layer.encoded_event@),
{
    let encoded_event = message::encode(event);
    let digest = measure_digest(encoded_event.as_slice());
    let mut additional_claims: Vec<DigestClaim> = Vec::new();
    additional_claims.push(
        DigestClaim { claim: ids.event, hash: ids.sha2_256, digest: digest.sha2_256 },
    );
    LayerData { additional_claims, encoded_event }
}

// ---------------------------------------------------------------------------
// Laws
// ---------------------------------------------------------------------------

/// A wasm workload event survives the event log: what is decoded of its encoding
/// is the event, and what is decoded of its payload is what was put in, the
/// capability claim verbatim among it.
pub proof fn law_wasm_workload_event_round_trips(
    bundle: Seq<u8>,
    config: Seq<u8>,
    capability_claim: Seq<u8>,
    keys: InstancePublicKeys,
)
    requires
        message::encoding::<Event>(
            wasm_workload_event(bundle, config, capability_claim, keys),
        ).len() <= u64::MAX,
        message::encoding::<WasmWorkloadLayerData>(
            wasm_workload_data(bundle, config, capability_claim, keys),
        ).len() <= u64::MAX,
    ensures
        policy::payload_of::<WasmWorkloadLayerData>(
            WASM_WORKLOAD_LAYER_DATA_TYPE_URL@,
            message::encoding::<Event>(
                wasm_workload_event(bundle, config, capability_claim, keys),
            ),
        ) == Ok::<attestation::WasmWorkloadLayerDataView, policy::PolicyError>(
            wasm_workload_data(bundle, config, capability_claim, keys),
        ),
{
    let limit = wire::RECURSION_LIMIT as nat;
    message::law_decode_encode::<Event>(
        wasm_workload_event(bundle, config, capability_claim, keys),
        limit,
    );
    message::law_decode_encode::<WasmWorkloadLayerData>(
        wasm_workload_data(bundle, config, capability_claim, keys),
        limit,
    );
}

/// A container event survives the event log.
pub proof fn law_container_event_round_trips(
    container: Seq<u8>,
    config: Seq<u8>,
    keys: InstancePublicKeys,
)
    requires
        message::encoding::<Event>(container_event(container, config, keys)).len() <= u64::MAX,
        message::encoding::<ContainerLayerData>(
            container_data(container, config, keys),
        ).len() <= u64::MAX,
    ensures
        policy::payload_of::<ContainerLayerData>(
            CONTAINER_LAYER_DATA_TYPE_URL@,
            message::encoding::<Event>(container_event(container, config, keys)),
        ) == Ok::<attestation::ContainerLayerDataView, policy::PolicyError>(
            container_data(container, config, keys),
        ),
{
    let limit = wire::RECURSION_LIMIT as nat;
    message::law_decode_encode::<Event>(container_event(container, config, keys), limit);
    message::law_decode_encode::<ContainerLayerData>(
        container_data(container, config, keys),
        limit,
    );
}

/// A wasm workload event names its workload the way a container event does: the
/// two carry the same measurements and the same keys, so that keys are extracted
/// from both alike.
pub proof fn law_workload_events_carry_the_same_keys(
    bundle: Seq<u8>,
    config: Seq<u8>,
    capability_claim: Seq<u8>,
    keys: InstancePublicKeys,
)
    ensures
        ({
            let wasm = wasm_workload_data(bundle, config, capability_claim, keys);
            let container = container_data(bundle, config, keys);
            &&& wasm.bundle == container.bundle
            &&& wasm.config == container.config
            &&& wasm.hybrid_encryption_public_key == container.hybrid_encryption_public_key
            &&& wasm.signing_public_key == container.signing_public_key
            &&& wasm.session_binding_public_key == container.session_binding_public_key
        }),
{
}

/// What a verifier decodes of a system event is the digest of the image: the event
/// is the `stage1` event, and its payload, of the system layer's type, holds the
/// SHA-256 of the very image that was measured.
pub proof fn law_system_event_holds_the_image_digest(system_image: Seq<u8>)
    requires
        message::encoding::<Event>(system_event(system_image)).len() <= u64::MAX,
        system_event(system_image).event matches Some(any) ==> any.value.len() <= u64::MAX,
    ensures
        system_event(system_image).tag == "stage1"@,
        policy::payload_of::<SystemLayerData>(
            "type.googleapis.com/oak.attestation.v1.SystemLayerData"@,
            message::encoding::<Event>(system_event(system_image)),
        ) matches Ok(data) && data.system_image matches Some(digest) && digest.sha2_256
            == hash::sha256_digest(system_image),
{
    let limit = wire::RECURSION_LIMIT as nat;
    message::law_decode_encode::<Event>(system_event(system_image), limit);
    message::law_decode_encode::<SystemLayerData>(
        attestation::SystemLayerDataView { system_image: Some(measured(system_image)) },
        limit,
    );
}

/// What a verifier decodes of a container event: the digests of the image and of
/// the configuration, each of its own bytes, and the three public keys of the
/// instance, each in its own place.
pub proof fn law_container_event_describes_the_instance(
    container: Seq<u8>,
    config: Seq<u8>,
    keys: InstancePublicKeys,
)
    requires
        message::encoding::<Event>(container_event(container, config, keys)).len() <= u64::MAX,
        container_event(container, config, keys).event matches Some(any) ==> any.value.len()
            <= u64::MAX,
    ensures
        container_event(container, config, keys).tag == "ORCHESTRATOR"@,
        policy::payload_of::<ContainerLayerData>(
            "type.googleapis.com/oak.attestation.v1.ContainerLayerData"@,
            message::encoding::<Event>(container_event(container, config, keys)),
        ) matches Ok(data) && {
            &&& data.bundle matches Some(digest) && digest.sha2_256 == hash::sha256_digest(
                container,
            )
            &&& data.config matches Some(digest) && digest.sha2_256 == hash::sha256_digest(config)
            &&& data.hybrid_encryption_public_key == keys.encryption_public_key@
            &&& data.signing_public_key == keys.signing_public_key.point()
            &&& data.session_binding_public_key == keys.session_binding_public_key.point()
        },
{
    let limit = wire::RECURSION_LIMIT as nat;
    message::law_decode_encode::<Event>(container_event(container, config, keys), limit);
    message::law_decode_encode::<ContainerLayerData>(
        container_data(container, config, keys),
        limit,
    );
}

/// What a verifier decodes of a wasm workload event: the digests of the bundle and
/// of the configuration, each of its own bytes, the three public keys of the
/// instance, each in its own place, and the capability claim byte for byte.
pub proof fn law_wasm_workload_event_describes_the_instance(
    bundle: Seq<u8>,
    config: Seq<u8>,
    capability_claim: Seq<u8>,
    keys: InstancePublicKeys,
)
    requires
        message::encoding::<Event>(
            wasm_workload_event(bundle, config, capability_claim, keys),
        ).len() <= u64::MAX,
        wasm_workload_event(bundle, config, capability_claim, keys).event matches Some(any)
            ==> any.value.len() <= u64::MAX,
    ensures
        wasm_workload_event(bundle, config, capability_claim, keys).tag == "ORCHESTRATOR"@,
        policy::payload_of::<WasmWorkloadLayerData>(
            "type.googleapis.com/oak.attestation.v1.WasmWorkloadLayerData"@,
            message::encoding::<Event>(
                wasm_workload_event(bundle, config, capability_claim, keys),
            ),
        ) matches Ok(data) && {
            &&& data.bundle matches Some(digest) && digest.sha2_256 == hash::sha256_digest(bundle)
            &&& data.config matches Some(digest) && digest.sha2_256 == hash::sha256_digest(config)
            &&& data.hybrid_encryption_public_key == keys.encryption_public_key@
            &&& data.signing_public_key == keys.signing_public_key.point()
            &&& data.session_binding_public_key == keys.session_binding_public_key.point()
            &&& data.capability_claim == capability_claim
        },
{
    let limit = wire::RECURSION_LIMIT as nat;
    message::law_decode_encode::<Event>(
        wasm_workload_event(bundle, config, capability_claim, keys),
        limit,
    );
    message::law_decode_encode::<WasmWorkloadLayerData>(
        wasm_workload_data(bundle, config, capability_claim, keys),
        limit,
    );
}

} // verus!
