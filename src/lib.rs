//! A persistent, ownership-checked store of legal advisors and consultations.
//!
//! The store keeps each collection in its own partition of durable memory,
//! encodes every record with a bounded, self-describing byte format, mints
//! identifiers from a durable counter, and gates mutations of a consultation
//! on the identity that owns its advisor.

pub mod codec;
pub mod records;
pub mod storage;
pub mod model;
pub mod store;
pub mod laws;
