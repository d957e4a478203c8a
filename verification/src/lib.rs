//! A contract-call protocol between a host and a sandboxed guest.
//!
//! The host places a serialised value in the guest's linear memory, calls one
//! of the guest's operations with a pointer and a length, and reads a
//! serialised result back. The guest decodes the value, applies one step of a
//! small poll and vote state machine, and encodes the outcome.

pub mod codec;
pub mod error;
pub mod guest;
pub mod host;
pub mod state;
pub mod wire;
