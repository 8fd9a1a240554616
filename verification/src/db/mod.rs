//! The stored rows and the decisions of the storage service.

pub mod bootstrap;
pub mod model;
pub mod scylladb;
