//! The messages that stand on the wire.

pub mod attestation;
pub mod claim;
pub mod config;
pub mod fields;
pub mod keys;
