//! A job marketplace with escrowed payment, verified with Verus.
//!
//! An owner posts a task together with a deposited budget; a worker claims
//! it, performs it and submits a result; the owner either approves, which
//! releases the budget to the worker, or rejects, which reopens the job for
//! rework. The registry in this crate is the deterministic core of that
//! marketplace: the host environment supplies the caller's identity and the
//! deposited value as plain parameters and carries out the payout that a
//! successful approval returns.

pub mod indices;
pub mod laws;
pub mod model;
pub mod registry;
pub mod types;
