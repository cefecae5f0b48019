//! A verified codec for the binary request/response framing of a minimal
//! Kafka-compatible broker.
//!
//! The library covers the primitive wire encodings (big-endian scalars,
//! varints, compact strings and arrays, tagged-field sections), the typed
//! request and response messages built from them, and the dispatcher that
//! maps an `(api_key, api_version)` pair to a response. Every encoder and
//! decoder carries a contract relating it to a specification-level byte
//! sequence, and the round-trip laws are proved once and for all.

pub mod api_version;
pub mod body;
pub mod cluster_metadata;
pub mod describe_topic_partitions;
pub mod dispatch;
pub mod error;
pub mod header;
pub mod primitive;
pub mod response;
pub mod text;
