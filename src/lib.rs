//! State tracking and fan-out for a detachable 3270 terminal gateway.
//!
//! The library folds the indications of a `b3270` emulator into a replica of
//! its state, turns that replica back into a resync snapshot, routes run
//! results to the request that caused them, and drives each client session.

pub mod b3270;
pub mod arbiter;
pub mod session;
pub mod tracker;
