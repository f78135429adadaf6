//! A small inventory pool with a single active checkout.
//!
//! The catalog holds items; a checkout withdraws one unit of an item and is
//! consumed over a number of rounds. At most one checkout is active at a time.

pub mod interface;
pub mod laws;
pub mod like;
pub mod query;
mod rng;
pub mod store;
pub mod taken;
