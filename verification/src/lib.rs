//! Row-level logic of a set of Spark-compatible SQL functions and table
//! helpers: sentence splitting, regular-expression extraction, seeding of
//! random numbers, schema projection and the no-op table format.

pub mod text;
pub mod sentences;
pub mod pattern;
pub mod regexp_extract_all;
pub mod random;
pub mod schema_adapter;
pub mod noop;
