//! Time-bucketed aggregation of stored time-series samples, and the decisions
//! of the incremental ingestion that fills the store.
//!
//! - `interval`: named intervals and bucket alignment
//! - `filter`: compact comparison filters such as `assetDepth>1000`
//! - `store`, `bucket`, `order`, `engine`: selection, grouping, ordering,
//!   pagination, and the series store with its checkpoint
//! - `api`: request parameters of the history endpoints
//! - `ingest`: the ingestion pump as a state machine
//! - `coerce`, `number`, `text`, `settings`, `schema`: supporting pieces
use vstd::prelude::*;

pub mod api;
pub mod bucket;
pub mod coerce;
pub mod engine;
pub mod filter;
pub mod ingest;
pub mod interval;
pub mod number;
pub mod order;
pub mod schema;
pub mod settings;
pub mod store;
pub mod text;

verus! {

} // verus!
