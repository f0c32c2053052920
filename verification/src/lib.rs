//! A library for specifying distributed and concurrent systems as state
//! machines and exhaustively model-checking them against safety and
//! reachability properties.
//!
//! A model is defined by a transition relation (`Model`) together with a set
//! of named properties (`Property`). The breadth-first checker (`Checker`)
//! enumerates the reachable state space, deduplicates states by 64-bit
//! fingerprint, reports the first state violating an "always" property along
//! with a path from an initial state, and records witnesses for "sometimes"
//! properties.
//!
//! The `actor` module reduces an asynchronous message-passing system to such
//! a state machine, and `actor::ordered_reliable_link` provides a wrapper
//! actor that implements at-most-once in-order delivery on top of a lossy,
//! duplicating network.

pub mod fingerprint;
pub mod actor;
pub mod checker;
pub mod examples;

pub use checker::{CheckResult, Checker, Expectation, Model, Path, Property, StepVec};
pub use fingerprint::ModelValue;
