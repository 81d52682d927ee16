//! The logic of an OnGROW rendezvous server, verified.

pub mod text;
pub mod wire;
pub mod crypto;
pub mod identity;
pub mod attestation;
pub mod net;
pub mod clock;
pub mod args;
pub mod update;
pub mod keys;
pub mod database;
