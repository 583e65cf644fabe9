//! The policy for workloads of either shape.

use crate::attestation::{CONTAINER_LAYER_DATA_TYPE_URL, WASM_WORKLOAD_LAYER_DATA_TYPE_URL};
use crate::message;
use crate::order;
use crate::policy;
use crate::policy::wasm_workload;
use crate::policy::wasm_workload::WasmWorkloadPolicy;
use crate::policy::{EventAttestationResults, EventPolicy, PolicyError};
use crate::proto::attestation::{Event, EventView, WasmWorkloadLayerData};
use crate::text;
use crate::wire;
use vstd::prelude::*;

verus! {

/// Verifies the workload layer of the event log, accepting either workload shape:
///
///  * a classic container, verified by measurement by the container policy, or
///  * a capability-based wasm workload, verified by [`WasmWorkloadPolicy`] without
///    regard to measurements.
///
/// The event's type URL selects the branch. Used in the workload slot of the event
/// log, it lets one verifier serve both workload kinds without committing to
/// either up front.
pub struct WorkloadPolicy<C: EventPolicy> {
    pub container: C,
    pub wasm: WasmWorkloadPolicy,
}

/// The shape of a workload.
#[derive(Debug, Clone, Copy, PartialEq, Eq, Structural)]
pub enum WorkloadShape {
    Container,
    Wasm,
}

/// The shape of the workload that an encoded event describes.
pub open spec fn shape_of(evidence: Seq<u8>) -> Result<WorkloadShape, PolicyError> {
    match message::decoded::<Event>(evidence, wire::RECURSION_LIMIT as nat) {
        None => Err(PolicyError::NotAnEvent),
        Some(event) => match event.event {
            None => Err(PolicyError::UnsupportedType),
            Some(any) => if any.type_url == WASM_WORKLOAD_LAYER_DATA_TYPE_URL@ {
                Ok(WorkloadShape::Wasm)
            } else if any.type_url == CONTAINER_LAYER_DATA_TYPE_URL@ {
                Ok(WorkloadShape::Container)
            } else {
                Err(PolicyError::UnsupportedType)
            },
        },
    }
}

/// The shape of the workload that an encoded event describes.
pub fn workload_shape(evidence: &[u8]) -> (r: Result<WorkloadShape, PolicyError>)
    ensures
        r == shape_of(evidence@),
{
    let event = match message::decode::<Event>(evidence, wire::RECURSION_LIMIT) {
        Ok(event) => event,
        Err(_) => return Err(PolicyError::NotAnEvent),
    };
    match &event.event {
        None => Err(PolicyError::UnsupportedType),
        Some(any) => {
            let type_url = any.type_url.as_str();
            if text::str_equal(type_url, WASM_WORKLOAD_LAYER_DATA_TYPE_URL) {
                Ok(WorkloadShape::Wasm)
            } else if text::str_equal(type_url, CONTAINER_LAYER_DATA_TYPE_URL) {
                Ok(WorkloadShape::Container)
            } else {
                Err(PolicyError::UnsupportedType)
            }
        },
    }
}

impl<C: EventPolicy> WorkloadPolicy<C> {
    /// The policy. `container` is used only for the container branch; the wasm
    /// branch is measurement-agnostic and ignores it.
    pub fn new(container: C) -> (policy: WorkloadPolicy<C>)
        ensures
            policy.container == container,
    {
        WorkloadPolicy { container, wasm: WasmWorkloadPolicy::new() }
    }
}

impl<C: EventPolicy> EventPolicy for WorkloadPolicy<C> {
    fn verify(&self, evidence: &[u8]) -> (r: Result<EventAttestationResults, PolicyError>)
        ensures
            match shape_of(evidence@) {
                Err(e) => r == Err::<EventAttestationResults, PolicyError>(e),
                Ok(WorkloadShape::Container) => call_ensures(
                    C::verify,
                    (&self.container, evidence),
                    r,
                ),
                Ok(WorkloadShape::Wasm) => match policy::payload_of::<WasmWorkloadLayerData>(
                    WASM_WORKLOAD_LAYER_DATA_TYPE_URL@,
                    evidence@,
                ) {
                    Ok(data) => r matches Ok(results) && order::views(results.artifacts@)
                        == wasm_workload::key_artifacts(data),
                    Err(e) => r == Err::<EventAttestationResults, PolicyError>(e),
                },
            },
    {
        match workload_shape(evidence) {
            Ok(WorkloadShape::Wasm) => self.wasm.verify(evidence),
            Ok(WorkloadShape::Container) => self.container.verify(evidence),
            Err(e) => Err(e),
        }
    }
}

// ---------------------------------------------------------------------------
// Laws
// ---------------------------------------------------------------------------

/// An event has one shape: what the container branch takes, the wasm branch turns
/// down, and the other way round.
pub proof fn law_shapes_exclude_each_other(evidence: Seq<u8>)
    ensures
        shape_of(evidence) == Ok::<WorkloadShape, PolicyError>(WorkloadShape::Container)
            ==> policy::payload_of::<WasmWorkloadLayerData>(
            WASM_WORKLOAD_LAYER_DATA_TYPE_URL@,
            evidence,
        ) is Err,
        policy::payload_of::<WasmWorkloadLayerData>(
            WASM_WORKLOAD_LAYER_DATA_TYPE_URL@,
            evidence,
        ) is Ok ==> shape_of(evidence) == Ok::<WorkloadShape, PolicyError>(WorkloadShape::Wasm),
{
}

/// The type of an event's payload alone decides who verifies it: the wasm policy
/// takes the payloads of the wasm workload's type, the container policy those of
/// the container's type, whatever the tag and the payload hold, and everything else
/// is unsupported.
pub proof fn law_type_url_selects_the_branch(event: EventView)
    requires
        message::encoding::<Event>(event).len() <= u64::MAX,
    ensures
        ({
            let shape = shape_of(message::encoding::<Event>(event));
            match event.event {
                None => shape == Err::<WorkloadShape, PolicyError>(PolicyError::UnsupportedType),
                Some(any) => {
                    &&& shape == Ok::<WorkloadShape, PolicyError>(WorkloadShape::Wasm)
                        <==> any.type_url
                        == "type.googleapis.com/oak.attestation.v1.WasmWorkloadLayerData"@
                    &&& shape == Ok::<WorkloadShape, PolicyError>(WorkloadShape::Container)
                        <==> any.type_url
                        == "type.googleapis.com/oak.attestation.v1.ContainerLayerData"@
                    &&& shape is Err ==> shape == Err::<WorkloadShape, PolicyError>(
                        PolicyError::UnsupportedType,
                    )
                },
            }
        }),
{
    message::law_decode_encode::<Event>(event, wire::RECURSION_LIMIT as nat);
    reveal_strlit("type.googleapis.com/oak.attestation.v1.WasmWorkloadLayerData");
    reveal_strlit("type.googleapis.com/oak.attestation.v1.ContainerLayerData");
    assert("type.googleapis.com/oak.attestation.v1.WasmWorkloadLayerData"@.len()
        != "type.googleapis.com/oak.attestation.v1.ContainerLayerData"@.len());
}

} // verus!
