//! Genesis bootstrap and verification library for a proof-of-stake network.
//!
//! The crate builds the canonical initial ledger state of a network: it seeds
//! a world-state view with system contract bytecode, executes an ordered batch
//! of bootstrap transactions through an external virtual machine, classifies
//! the outcomes, merges the resulting state delta into a canonical snapshot,
//! and can later replay a query against a persisted snapshot to validate it.

pub mod hexfmt;
pub mod u256;
pub mod address;
pub mod account;
pub mod registry;
pub mod keccak;
pub mod txn;
pub mod outcome;
pub mod engine;
pub mod seed;
pub mod merge;
pub mod config;
pub mod abi;
pub mod verify;
pub mod generate;
