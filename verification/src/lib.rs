//! An orchestrator for confined WebAssembly workloads.
//!
//! It loads a composition of components or a session component, derives what they
//! can reach as a capability claim, attests that claim, and runs what it attested.

use vstd::prelude::*;

pub mod attestation;
pub mod bundle;
pub mod canonical;
pub mod capability;
pub mod commitment;
pub mod compiled;
pub mod composition;
pub mod confidential_transform;
pub mod emissions;
pub mod engine;
pub mod guest;
pub mod hash;
pub mod host;
pub mod logging;
pub mod message;
pub mod orchestrator;
pub mod order;
pub mod policy;
pub mod proto;
pub mod protocol;
pub mod runtime;
pub mod text;
pub mod topology;
pub mod transform_crypto;
pub mod transform_session;
pub mod wasi;
pub mod wasi_context;
pub mod wasm_runtime;
pub mod wire;

verus! {

} // verus!
