//! Deterministic password derivation gated by a local credential store.
//!
//! The crate has three parts: a catalog of the four character classes a
//! derived password may draw on (`characters`), a derivation engine that
//! turns a master secret, a salt, a length and a class selection into a
//! reproducible password through a memory-hard hash (`generator`), and a
//! credential store with the authenticator that gates access to the engine
//! (`auth`).  `inputs` and `service` hold the pure parts of the surrounding
//! command handling: turning user-typed text into selections, lengths and
//! service labels.

pub mod auth;
pub mod buffers;
pub mod characters;
pub mod generator;
pub mod inputs;
pub mod service;
