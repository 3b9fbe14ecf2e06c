//! Watchtower support for a Lightning node.
//!
//! Takes in every channel state change to capture counterparty commitment data, then produces
//! ready-to-encrypt justice blobs for LND watchtower compatibility.
//!
//! Two-phase approach:
//! 1. Each time a channel is persisted, capture new counterparty commitments
//! 2. Attempt to sign justice transactions for previously captured commitments (the revocation
//!    secret arrives in the following update)

pub mod blob;
mod bytes;
pub mod commitment;
pub mod csv;
pub mod laws;
pub mod ldk;
pub mod meaning;
pub mod monitors;
pub mod pending;
pub mod persister;
pub mod state;
pub mod text;
pub mod to_remote;

pub use blob::WatchtowerJusticeBlob;
pub use monitors::{
    export_monitors, list_monitor_info, Error, WatchtowerMonitorData, WatchtowerMonitorInfo,
};
pub use persister::WatchtowerPersister;
