//! A minimal in-memory relational store: statement text is tokenized and
//! parsed into a typed statement, which is executed against a collection of
//! tables that enforce primary and unique constraints and support two-table
//! equi-joins.

pub mod database;
pub mod engine;
pub mod error;
pub mod parser;
pub mod text;
pub mod value;

pub use database::Database;
pub use error::{DbError, Result};
