//! The policy for wasm workloads.

use crate::attestation as events;
use crate::attestation::{InstancePublicKeys, WASM_WORKLOAD_LAYER_DATA_TYPE_URL};
use crate::message;
use crate::order;
use crate::policy;
use crate::policy::{
    decode_event_proto, EventAttestationResults, EventPolicy, KeyArtifact, KeyPurpose, PolicyError,
};
use crate::proto::attestation;
use crate::proto::attestation::{Event, WasmWorkloadLayerData};
use vstd::prelude::*;

verus! {

/// Verifies the wasm workload layer of the event log.
///
/// The policy is deliberately measurement-agnostic: a wasm workload is authorized
/// by its attested capability claim, not by pinning the digest of its bundle or
/// its configuration. It therefore compares no measurement and only surfaces the
/// workload's public keys. The capability claim is left in the event for those who
/// release keys; this policy neither inspects nor endorses it.
#[derive(Debug)]
pub struct WasmWorkloadPolicy {}

impl Default for WasmWorkloadPolicy {
    fn default() -> (policy: WasmWorkloadPolicy)
        ensures
            policy == (WasmWorkloadPolicy {  }),
    {
        WasmWorkloadPolicy::new()
    }
}

impl WasmWorkloadPolicy {
    /// The policy.
    pub fn new() -> (policy: WasmWorkloadPolicy)
        ensures
            policy == (WasmWorkloadPolicy {  }),
    {
        WasmWorkloadPolicy {  }
    }
}

/// A key, where there is one.
pub open spec fn key_artifact(purpose: KeyPurpose, key: Seq<u8>) -> Seq<policy::KeyArtifactView> {
    if key.len() == 0 {
        Seq::empty()
    } else {
        seq![policy::KeyArtifactView { purpose, key }]
    }
}

/// The keys that a wasm workload event vouches for: those of its three keys that
/// are there.
pub open spec fn key_artifacts(data: attestation::WasmWorkloadLayerDataView) -> Seq<
    policy::KeyArtifactView,
> {
    key_artifact(KeyPurpose::SessionBinding, data.session_binding_public_key) + key_artifact(
        KeyPurpose::HybridEncryption,
        data.hybrid_encryption_public_key,
    ) + key_artifact(KeyPurpose::Signing, data.signing_public_key)
}

/// Adds a key, where there is one.
fn push_key(artifacts: &mut Vec<KeyArtifact>, purpose: KeyPurpose, key: Vec<u8>)
    ensures
        order::views(final(artifacts)@) == order::views(old(artifacts)@) + key_artifact(
            purpose,
            key@,
        ),
{
    let ghost before = order::views(artifacts@);
    if key.len() > 0 {
        let artifact = KeyArtifact { purpose, key };
        assert(order::views(artifacts@.push(artifact)) =~= before + seq![artifact@]);
        artifacts.push(artifact);
    } else {
        assert(before =~= before + Seq::<policy::KeyArtifactView>::empty());
    }
}

impl EventPolicy for WasmWorkloadPolicy {
    fn verify(&self, evidence: &[u8]) -> (r: Result<EventAttestationResults, PolicyError>)
        ensures
            match policy::payload_of::<WasmWorkloadLayerData>(
                WASM_WORKLOAD_LAYER_DATA_TYPE_URL@,
                evidence@,
            ) {
                Ok(data) => r matches Ok(results) && order::views(results.artifacts@)
                    == key_artifacts(data),
                Err(e) => r == Err::<EventAttestationResults, PolicyError>(e),
            },
    {
        let data = match decode_event_proto::<WasmWorkloadLayerData>(
            WASM_WORKLOAD_LAYER_DATA_TYPE_URL,
            evidence,
        ) {
            Ok(data) => data,
            Err(e) => return Err(e),
        };
        let mut artifacts: Vec<KeyArtifact> = Vec::new();
        let ghost none = order::views(artifacts@);
        push_key(&mut artifacts, KeyPurpose::SessionBinding, data.session_binding_public_key);
        push_key(&mut artifacts, KeyPurpose::HybridEncryption, data.hybrid_encryption_public_key);
        push_key(&mut artifacts, KeyPurpose::Signing, data.signing_public_key);
        proof {
            assert(none =~= Seq::empty());
            assert(order::views(artifacts@) =~= key_artifacts(data@));
        }
        Ok(EventAttestationResults { artifacts })
    }
}

// ---------------------------------------------------------------------------
// Laws
// ---------------------------------------------------------------------------

/// The keys that are extracted of a wasm workload event do not depend on the
/// measurements or on the capability claim in it.
pub proof fn law_keys_do_not_depend_on_measurements(
    a: attestation::WasmWorkloadLayerDataView,
    b: attestation::WasmWorkloadLayerDataView,
)
    requires
        a.hybrid_encryption_public_key == b.hybrid_encryption_public_key,
        a.signing_public_key == b.signing_public_key,
        a.session_binding_public_key == b.session_binding_public_key,
    ensures
        key_artifacts(a) == key_artifacts(b),
{
}

/// A verifier extracts, of the event that an instance makes of itself, the keys of
/// that instance.
pub proof fn law_verifier_extracts_the_instance_keys(
    bundle: Seq<u8>,
    config: Seq<u8>,
    capability_claim: Seq<u8>,
    keys: InstancePublicKeys,
)
    requires
        message::encoding::<Event>(
            events::wasm_workload_event(bundle, config, capability_claim, keys),
        ).len() <= u64::MAX,
        message::encoding::<WasmWorkloadLayerData>(
            events::wasm_workload_data(bundle, config, capability_claim, keys),
        ).len() <= u64::MAX,
    ensures
        policy::payload_of::<WasmWorkloadLayerData>(
            WASM_WORKLOAD_LAYER_DATA_TYPE_URL@,
            message::encoding::<Event>(
                events::wasm_workload_event(bundle, config, capability_claim, keys),
            ),
        ) matches Ok(data) && key_artifacts(data) == key_artifact(
            KeyPurpose::SessionBinding,
            keys.session_binding_public_key.point(),
        ) + key_artifact(KeyPurpose::HybridEncryption, keys.encryption_public_key@) + key_artifact(
            KeyPurpose::Signing,
            keys.signing_public_key.point(),
        ),
{
    events::law_wasm_workload_event_round_trips(bundle, config, capability_claim, keys);
}

/// A key is vouched for exactly where it is there: for each purpose, what is
/// vouched for is the key that the event holds for that purpose, where it is not
/// empty, and it is vouched for once. A missing key hides no other.
pub proof fn law_each_present_key_is_vouched_for(data: attestation::WasmWorkloadLayerDataView)
    ensures
        forall|key: Seq<u8>|
            #[trigger] key_artifacts(data).contains(
                (policy::KeyArtifactView { purpose: KeyPurpose::SessionBinding, key }),
            ) <==> key == data.session_binding_public_key && key.len() > 0,
        forall|key: Seq<u8>|
            #[trigger] key_artifacts(data).contains(
                (policy::KeyArtifactView { purpose: KeyPurpose::HybridEncryption, key }),
            ) <==> key == data.hybrid_encryption_public_key && key.len() > 0,
        forall|key: Seq<u8>|
            #[trigger] key_artifacts(data).contains(
                (policy::KeyArtifactView { purpose: KeyPurpose::Signing, key }),
            ) <==> key == data.signing_public_key && key.len() > 0,
        forall|i: int, j: int|
            0 <= i < j < key_artifacts(data).len() ==> (#[trigger] key_artifacts(data)[i]).purpose
                != (#[trigger] key_artifacts(data)[j]).purpose,
{
    let all = key_artifacts(data);
    let first = key_artifact(KeyPurpose::SessionBinding, data.session_binding_public_key);
    let second = key_artifact(KeyPurpose::HybridEncryption, data.hybrid_encryption_public_key);
    if data.session_binding_public_key.len() > 0 {
        assert(all[0] == first[0]);
    }
    if data.hybrid_encryption_public_key.len() > 0 {
        assert(all[first.len() as int] == second[0]);
    }
    if data.signing_public_key.len() > 0 {
        assert(all[(first.len() + second.len()) as int] == key_artifact(
            KeyPurpose::Signing,
            data.signing_public_key,
        )[0]);
    }
}

} // verus!
