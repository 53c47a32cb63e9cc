//! The records of the state database.
pub mod packages;
pub mod schema;
pub mod transactions;
