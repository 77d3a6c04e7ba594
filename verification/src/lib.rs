//! A small LAN file-sharing daemon's verified core: the per-connection
//! authentication state machine, the content-addressed file catalog, the
//! path-resolution cache with time-based eviction, and the chunked
//! byte-range reader.
//!
//! Network transport, filesystem walking and the credential-store backend
//! are left to the surrounding (unverified) application, which hands the
//! core plain values: an in-memory snapshot of the share, the current time
//! in seconds, and the parsed protocol messages.

pub mod data;
pub mod file;
pub mod test_utils;
pub mod ws;
