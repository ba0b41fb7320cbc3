//! Verified building blocks of three small systems.
//!
//! - Chaum–Pedersen discrete-logarithm authentication over
//!   arbitrary-precision naturals ([`bignat`], [`zkp`], [`prover`]), with a
//!   verifier that keeps per-user credentials and sessions ([`service`]).
//! - A task scheduler that places tasks after their dependencies and reports
//!   the critical path, the minimum duration and the parallelism
//!   ([`task`], [`parser`], [`scheduler`]).
//! - A waiter's order book ([`order`], [`waiter`]).

pub mod bignat;
pub mod error;
pub mod order;
pub mod parser;
pub mod prover;
pub mod scheduler;
pub mod service;
pub mod task;
pub mod waiter;
pub mod zkp;
