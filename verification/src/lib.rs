//! A minimal ledger-record store together with a fuzz-harness core.
//!
//! The store manages a single record kind: a message account bound
//! permanently to the signer that created it.  The harness decodes raw
//! entropy bytes into instruction sequences, replays them against an
//! in-memory ledger snapshot, and checks the store's invariants after
//! every step.

pub mod decoder;
pub mod harness;
pub mod state;
