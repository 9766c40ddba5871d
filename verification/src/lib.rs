//! Core of a real-time collaborative document synchronization engine.
//!
//! Multiple clients co-edit a shared document through conflict-free
//! replicated data types (CRDTs): every inbound delta is applied to the
//! in-memory document, fanned out to live subscribers, and appended to a
//! durable update log from which a document can later be rehydrated.

pub mod api;
pub mod broadcast;
pub mod codec;
pub mod crdt;
pub mod integrity;
pub mod registry;
pub mod security;
pub mod session;
pub mod storage;
pub mod types;
