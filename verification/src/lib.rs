//! A small query engine: a recursive-descent parser for a restricted
//! SQL-like language and an executor that runs the parsed commands
//! against in-memory tables.

pub mod command_types;
pub mod commands;
pub mod compare;
pub mod condition;
pub mod errors;
pub mod extract_query;
pub mod laws;
pub mod order;
pub mod parser;
pub mod scan;
pub mod table;
pub mod value_map;

pub use errors::ErrorType;
