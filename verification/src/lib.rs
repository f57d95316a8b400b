//! Keeps DNS hostnames in managed zones pointed at a desired set of IP
//! addresses by computing the minimal set of record changes against a
//! zone-management provider, submitting them as one atomic batch, and
//! waiting for the batch to propagate.
//!
//! This crate holds the verified reconciliation logic: the per-hostname
//! diff engine, the paginated record-set reader, the change submitter's
//! reply handling, the propagation poller's state machine, and the
//! configuration model. Network I/O and provider bindings live outside.

pub mod addr;
pub mod config;
pub mod discovery;
pub mod diff;
pub mod error;
pub mod laws;
pub mod poll;
pub mod query_address_type;
pub mod reader;
pub mod strutil;
pub mod records;
pub mod ttl;
pub mod zone;

pub use ttl::Ttl;
