//! An append-only conversational event store: a content-addressed blob pack,
//! a turn log with per-context heads, a registry of type descriptors, payload
//! projection and encoding, secondary indexes, an event bus and the
//! client-side stream decoder and follow reconciler.
//!
//! The stores work on byte images of their files; the host program maps the
//! images to disk.

pub mod blob_store;
pub mod bundle;
pub mod client;
pub mod encode;
pub mod error;
pub mod events;
pub mod index;
pub mod json;
pub mod metadata;
pub mod order;
pub mod pack;
pub mod projection;
pub mod protocol;
pub mod registry;
pub mod registry_types;
pub mod replay;
pub mod session;
pub mod sse;
pub mod store;
pub mod text;
pub mod turn_store;
pub mod wire;
