//! Parsing of CSV listings of Japanese real estate into records, and an
//! in-memory store of those records.

pub mod csv;
pub mod property;
pub mod store;
pub mod text;
