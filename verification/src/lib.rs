//! Generation of SQL migration scripts from prevailing wage rate tables.
//!
//! The pipeline has three stages: parse a delimiter-separated table of rate
//! records, optionally join a prior-year description column onto matching
//! records by occupation code, and render the records as a SQL script whose
//! statement shape, wrapping style, fiscal-year policy and overwrite policy
//! are chosen per run. File reading and writing stay with the caller; the
//! library works on file contents and returns the script text.

pub mod enrich;
pub mod escape;
pub mod join;
pub mod num;
pub mod pipeline;
pub mod rate;
pub mod records;
pub mod sql;
