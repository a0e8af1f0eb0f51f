//! A merchant-configurable payment routing engine.
//!
//! The library decides, per transaction, which downstream payment connectors
//! to attempt and in what order, and whether to levy a surcharge. Routing
//! strategies are stored as versioned algorithm records, at most one of which
//! is active per scope and transaction type; ordered rule programs map a
//! transaction's attributes to an algorithm or a surcharge, and a static
//! fallback list keeps payments flowing when configuration is incomplete.

pub mod types;
pub mod search;
pub mod expression;
pub mod program;
pub mod algorithm;
pub mod store;
pub mod locks;
pub mod engine;
