//! A verified marketplace for licensable digital skills.
//!
//! Sellers list a skill at a price, buyers pay into a per-skill escrow, the
//! platform takes a proportional fee, and a license record gates use of the
//! skill until it expires or is deactivated. The crate is the transactional
//! account/escrow/license state machine: records are addressed by composite
//! keys (a keyed store stands in for deterministic address derivation, with
//! the same "exactly one creator wins" guarantee), and the balance-holding
//! ledger is an injected collaborator that the core instructs but does not
//! implement.

pub mod bytes;
pub mod errors;
pub mod fee;
pub mod laws;
pub mod ledger;
pub mod market;
pub mod state;
