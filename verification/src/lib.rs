//! Fault-injection harness for a firmware boot-selection algorithm.
//!
//! The library runs one invocation of the loader under test against a set of
//! simulated flash devices, forcing a deterministic interruption when a fault
//! budget of flash operations runs out and tallying intercepted assertion
//! failures, and classifies what happened into an inspectable outcome.

pub mod boot;
pub mod context;
pub mod enc;
pub mod flash;
pub mod loader;
pub mod registry;
