//! Payment contracts for AI agents, written as verified state machines.
//!
//! Each contract keeps its ledger state in a plain Rust value and exposes
//! one method per contract entry point. A method decides the outcome of a
//! call from the state and its arguments and returns the token movements
//! that the host has to carry out; the host runs authorization, clock reads
//! and token transfers around it.

pub mod shared;
pub mod agent_escrow;
pub mod payment_router;
pub mod sponsored_fee_vault;


