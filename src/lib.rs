//! Endpoint health monitoring and identity attestation stores.
//!
//! The monitor keeps a registry of endpoints, each with an append-only log of
//! health checks; the identity registry keeps at most one attestation record
//! per subject. Both are plain in-memory state machines: authorization, the
//! ledger clock and persistence are supplied by the caller.

pub mod identity;
pub mod monitor;

pub use identity::{IdentityError, IdentityRecord, IdentityRegistry};
pub use monitor::{Address, Check, CheckKey, Endpoint, EndpointKey, MonitorError, WebPulseMonitor};
