//! Storage core of a small metrics service: identifiers, binary key layout,
//! access control, the time-series engine and the root-account bootstrap.

pub mod ids;
pub mod keys;
pub mod schema;
pub mod store;
pub mod error;
pub mod auth;
pub mod series;
pub mod accounts;
pub mod metrics;
pub mod bootstrap;
pub mod db;
pub mod laws;
