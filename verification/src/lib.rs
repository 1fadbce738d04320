//! A reactive, time-indexed computation engine.
//!
//! The engine lets an application declare scalar functions of a
//! `(name, selector, time)` triple, evaluates them against an in-memory
//! mirror of database tables, records which leaves each evaluation read,
//! and, when a logical-replication change stream reports new rows, walks
//! the dependency graph forward to report the subscribed results whose
//! value may have changed.

pub mod defs;
pub mod engine;
pub mod glue;
pub mod graph;
pub mod pgoutput;
pub mod store;
pub mod time;
pub mod ts;

pub use defs::{Error, ErrorV, NodeKey, ParseError, Selector};
pub use engine::{Db, ValueFn};
pub use glue::{
    decode_entity, decode_i64, decode_time, Decode, EntityRef, FromTupleData, TableFromTupleData,
    TableMetadata, TableValues,
};
pub use graph::DepGraph;
pub use pgoutput::{decode, ColumnValue, LogicalReplicationMessage, RowData, TupleData};
pub use store::ValueStore;
pub use time::Time;
pub use ts::{TimeSeriesChanges, TimeSeriesDense, TimeSeriesInterval};
