//! A verified record-transformation chain engine.
//!
//! A chain is an ordered sequence of transform stages (map, filter,
//! filter-map, array-map, aggregate, join), each backed by an isolated
//! guest module.  Batches of records are streamed through the stages in
//! order; per-record guest failures are contained and reported, never
//! propagated to the caller.  The wire codec that carries record batches
//! across the host/guest boundary, the stage and chain execution logic,
//! and the throughput metrics are all verified here; the sandboxed
//! execution capability itself is an injected dependency reached through
//! the `GuestModule` trait.

pub mod records;
pub mod errors;
pub mod transform;
pub mod config;
pub mod metrics;
pub mod wire;
pub mod guest;
pub mod chain;
pub mod laws;
