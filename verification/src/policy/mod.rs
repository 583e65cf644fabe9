//! Policies that verify the events of a workload's attestation evidence.

use crate::message;
use crate::message::{Message, Schema};
use crate::proto::attestation::{AnyView, Event, EventView};
use crate::text;
use crate::wire;
use vstd::prelude::*;

pub mod wasm_workload;
pub mod workload;

verus! {

/// Why an event was not accepted.
#[derive(Debug, Clone, Copy, PartialEq, Eq, Structural)]
pub enum PolicyError {
    /// The evidence is not an event.
    NotAnEvent,
    /// The event has no payload.
    NoPayload,
    /// The payload is of another type.
    WrongType,
    /// The payload cannot be decoded.
    Payload,
    /// No policy takes payloads of that type.
    UnsupportedType,
    /// The event was decoded and turned down.
    Rejected,
}

/// What a public key is for.
#[derive(Debug, Clone, Copy, PartialEq, Eq, Structural)]
pub enum KeyPurpose {
    SessionBinding,
    HybridEncryption,
    Signing,
}

/// A public key that an event vouches for.
#[derive(Debug, Clone)]
pub struct KeyArtifact {
    pub purpose: KeyPurpose,
    pub key: Vec<u8>,
}

/// The mathematical counterpart of [`KeyArtifact`].
#[verifier::ext_equal]
pub struct KeyArtifactView {
    pub purpose: KeyPurpose,
    pub key: Seq<u8>,
}

impl View for KeyArtifact {
    type V = KeyArtifactView;

    open spec fn view(&self) -> KeyArtifactView {
        KeyArtifactView { purpose: self.purpose, key: self.key@ }
    }
}

/// What the verification of an event yields.
#[derive(Debug, Clone)]
pub struct EventAttestationResults {
    pub artifacts: Vec<KeyArtifact>,
}

/// A policy on events.
pub trait EventPolicy {
    /// Verifies an encoded event.
    fn verify(&self, evidence: &[u8]) -> Result<EventAttestationResults, PolicyError>;
}

/// The payload of an encoded event, where the event has one of the given type.
pub open spec fn payload_of<M: Schema>(type_url: Seq<char>, evidence: Seq<u8>) -> Result<
    M::V,
    PolicyError,
> {
    match message::decoded::<Event>(evidence, wire::RECURSION_LIMIT as nat) {
        None => Err(PolicyError::NotAnEvent),
        Some(event) => match event.event {
            None => Err(PolicyError::NoPayload),
            Some(any) => if any.type_url != type_url {
                Err(PolicyError::WrongType)
            } else {
                match message::decoded::<M>(any.value, wire::RECURSION_LIMIT as nat) {
                    None => Err(PolicyError::Payload),
                    Some(data) => Ok(data),
                }
            },
        },
    }
}

/// Decodes an event and its payload, which must be of the given type.
pub fn decode_event_proto<M: Message>(expected_type_url: &str, evidence: &[u8]) -> (r: Result<
    M,
    PolicyError,
>)
    ensures
        match r {
            Ok(data) => payload_of::<M>(expected_type_url@, evidence@) == Ok::<M::V, PolicyError>(
                data@,
            ),
            Err(e) => payload_of::<M>(expected_type_url@, evidence@) == Err::<M::V, PolicyError>(e),
        },
{
    let event = match message::decode::<Event>(evidence, wire::RECURSION_LIMIT) {
        Ok(event) => event,
        Err(_) => return Err(PolicyError::NotAnEvent),
    };
    match &event.event {
        None => Err(PolicyError::NoPayload),
        Some(any) => {
            if !text::str_equal(any.type_url.as_str(), expected_type_url) {
                return Err(PolicyError::WrongType);
            }
            match message::decode::<M>(any.value.as_slice(), wire::RECURSION_LIMIT) {
                Ok(data) => Ok(data),
                Err(_) => Err(PolicyError::Payload),
            }
        },
    }
}

// ---------------------------------------------------------------------------
// Laws
// ---------------------------------------------------------------------------

/// An event in the log is opened by the type of its payload and by nothing else:
/// an event with a payload of the asked type gives that payload back, whatever its
/// tag; one with a payload of another type, and one without a payload, is turned
/// down.
pub proof fn law_payload_is_chosen_by_its_type<M: Message>(
    tag: Seq<char>,
    type_url: Seq<char>,
    data: M::V,
    asked: Seq<char>,
)
    requires
        message::encoding::<M>(data).len() <= u64::MAX,
        M::depth() <= wire::RECURSION_LIMIT,
    ensures
        ({
            let event = EventView {
                tag,
                event: Some(AnyView { type_url, value: message::encoding::<M>(data) }),
            };
            message::encoding::<Event>(event).len() <= u64::MAX ==> payload_of::<M>(
                asked,
                message::encoding::<Event>(event),
            ) == (if asked == type_url {
                Ok::<M::V, PolicyError>(data)
            } else {
                Err::<M::V, PolicyError>(PolicyError::WrongType)
            })
        }),
        ({
            let bare = EventView { tag, event: None };
            message::encoding::<Event>(bare).len() <= u64::MAX ==> payload_of::<M>(
                type_url,
                message::encoding::<Event>(bare),
            ) == Err::<M::V, PolicyError>(PolicyError::NoPayload)
        }),
{
    let limit = wire::RECURSION_LIMIT as nat;
    let event = EventView {
        tag,
        event: Some(AnyView { type_url, value: message::encoding::<M>(data) }),
    };
    let bare = EventView { tag, event: None };
    message::law_decode_encode::<M>(data, limit);
    if message::encoding::<Event>(event).len() <= u64::MAX {
        message::law_decode_encode::<Event>(event, limit);
    }
    if message::encoding::<Event>(bare).len() <= u64::MAX {
        message::law_decode_encode::<Event>(bare, limit);
    }
}

/// A key artifact is seen as it is.
pub proof fn law_artifact_view_is_faithful(artifact: KeyArtifact)
    ensures
        artifact@.purpose == artifact.purpose,
        artifact@.key == artifact.key@,
{
}

} // verus!
