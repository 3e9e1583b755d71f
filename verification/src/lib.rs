//! The ledger of a Cashu mint backed by a Lightning node.
//!
//! The mint issues ecash tokens for paid Lightning invoices and redeems them
//! for Lightning payments. This crate holds what must never go wrong in
//! that: the tables ([`database`]), the steps that change them and what they
//! are proved to keep ([`model`], [`laws`]), the engine that takes the steps
//! ([`engine`]), and the decisions of the Lightning side ([`ln`]). It does no
//! I/O: the caller talks to the node, signs the tokens and writes to disk.

pub mod database;
pub mod engine;
pub mod error;
pub mod laws;
pub mod ln;
pub mod model;
pub mod node_manager;
mod table;
pub mod types;
pub mod utils;
