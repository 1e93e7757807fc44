//! Verified core of an image-ingestion pipeline.
//!
//! Raw bytes are classified by signature, the original is stored under a
//! key derived from a fresh identifier, a metadata record is created, and
//! resized derivatives are generated and stored under size-scoped keys,
//! with the record updated once from the aggregated results.

pub mod detect;
pub mod keys;
pub mod record;
pub mod store;
pub mod imaging;
pub mod pipeline;

use vstd::prelude::*;

verus! {

/// Largest payload, in bytes, that the ingestion pipeline accepts.
/// Oversized payloads are rejected by the request layer before they
/// reach the core.
pub const MAX_PAYLOAD_BYTES: usize = 10485760;

} // verus!
