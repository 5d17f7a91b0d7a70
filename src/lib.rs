//! Verified core of a chain-indexing daemon: the sync-state machine and its
//! checkpoint store, the admission-filter evaluator, the hexadecimal number
//! normalizer, the sink fan-out and the per-cycle decisions of the polling loop,
//! with the relational sink's schema and statement builders and the records
//! served by the query side.

pub mod error;
pub mod text;
pub mod json;
pub mod filter;
pub mod convert;
pub mod sync;
pub mod fanout;
pub mod engine;
pub mod control;
pub mod postgres;
pub mod schema;
pub mod model;
