//! A query fan-out aggregation gateway, as a verified core.
//!
//! Filter services register by address. For each query the gateway calls
//! every filter registered at that moment, folds the answers into one list
//! without repeated `url` values, and evicts the filters that could not be
//! reached. This crate holds the decisions of that gateway: the registry,
//! the record model, the merge, the per-call bookkeeping, the collection
//! window and the choice of delivery. Transport is left to the caller.

pub mod registry;
pub mod record;
pub mod merge;
pub mod call;
pub mod run;
pub mod delivery;
