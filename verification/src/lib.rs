//! Flattening of nested entity documents into the rows of a single
//! denormalised `nodes` table, and the decisions of the services that write
//! and read that table.

pub mod completeness;
pub mod config;
pub mod data;
pub mod db;
pub mod dispatch;
pub mod edge;
pub mod expansion;
pub mod flatten;
pub mod relations;
pub mod s3;
pub mod traversal;
