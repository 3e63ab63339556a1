//! Core logic for racing two blockchain node endpoints on pending-transaction
//! observation: transport resolution, per-endpoint observation collection, and
//! the deterministic comparison of the two finished observation maps.

pub mod collector;
pub mod comparator;
pub mod config;
pub mod ids;
pub mod orchestrator;
pub mod transport;
