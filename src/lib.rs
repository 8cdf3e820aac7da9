//! An in-memory store of JSON documents addressed by path, with generated
//! identifiers and a path-dispatch rule that tells a single item from a
//! collection.

pub mod document;
pub mod database;
pub mod concurrent;
pub mod cli_parameters;

pub use document::Document;
pub use database::{Database, Lookup};
pub use concurrent::{ConcurrentDatabase, DatabaseAccess, DatabaseError};
pub use cli_parameters::CliParams;
