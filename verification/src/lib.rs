//! Core of a multi-channel capture tool: a shared-memory ring buffer
//! transport with monotonic write positions, per-channel peak metering,
//! the line-oriented control-plane protocol spoken with the virtual-device
//! provider, the reconciliation of desired versus actual device sets, and
//! the interactive configuration state machine.

pub mod capture;
pub mod config;
pub mod devices;
pub mod flow;
pub mod protocol;
pub mod reconcile;
pub mod meter;
pub mod ring;
pub mod text;
pub mod ui;
