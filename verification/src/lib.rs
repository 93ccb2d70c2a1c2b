//! Scans directories for `.sql` files, executes them against MySQL and turns
//! the result sets into JSON documents.  This crate holds the verified core:
//! value conversion, result-set shaping, JSON document construction, error
//! classification, configuration lookups and the per-file decisions.

pub mod config;
pub mod database;
pub mod executor;
pub mod json_doc;
pub mod json_writer;
pub mod scanner;
pub mod text;
pub mod text_values;
pub mod trusted;
