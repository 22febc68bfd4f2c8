//! Stock ledger and sale engine for a small inventory and point-of-sale
//! system.
//!
//! Stock is never stored as a counter. Every change of inventory is an
//! immutable [`StockMovement`] appended to a log, and the balance of a
//! product is derived from that log. A sale is accepted only when the
//! derived balance covers it, and is recorded together with the egress
//! movement that debits the stock. The reporting functions are read-only
//! views that are recomputed from the logs on every call.
//!
//! All state lives in a [`Store`]. Mutating operations take `&mut Store`:
//! an exclusive borrow is the critical section, so the balance that a
//! sale is checked against cannot change before the sale is written.
//! Callers that share a store between threads wrap it in a lock.
//!
//! The modules, from the ground up:
//!
//! - [`date`], [`text`]: calendar days and the writing of numbers;
//! - [`model`], [`error`]: the records and the error kinds;
//! - [`log`]: append-only tables with assigned ids;
//! - [`ledger`], [`catalog`], [`tally`], [`reporting`], [`integrity`],
//!   [`export`]: the definitions that the contracts refer to, with the
//!   lemmas about them;
//! - [`store`]: the store and its operations;
//! - [`laws`]: what holds of the operations taken together;
//! - [`auth`], [`migration`]: user logins and the schema plan.

pub mod auth;
pub mod catalog;
pub mod date;
pub mod error;
pub mod export;
pub mod integrity;
pub mod laws;
pub mod ledger;
pub mod log;
pub mod migration;
pub mod model;
pub mod reporting;
pub mod store;
pub mod tally;
pub mod text;

pub use date::Date;
pub use error::{EngineError, ValidationError};
pub use model::{MovementKind, Product, Sale, StockMovement};
pub use store::Store;
