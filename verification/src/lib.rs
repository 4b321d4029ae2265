pub mod analyzer;
pub mod error;
pub mod laws;
pub mod parser;
pub mod query;
pub mod text;
pub mod types;
