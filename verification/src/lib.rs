//! Verified core of the ShieldedPay contracts: the treasury ledger, the
//! payroll commitment registry with its Merkle proofs, and the claim
//! registry that spends nullifiers.
//!
//! Each contract is a state machine over plain values. Its operations take
//! the current state and the call's arguments and return the next state
//! together with what the host has to do for the call to stand: whose
//! authorization it needs, which token transfer it makes, which event it
//! publishes.

pub mod addr;
pub mod host;
pub mod keymap;
pub mod effects;
pub mod treasury;
pub mod payroll;
pub mod claim;
