//! The settings of the service.

use vstd::prelude::*;

verus! {

/// The settings that the service is started with.
#[derive(Debug, Clone, PartialEq, Eq)]
pub struct Config {
    /// The address the HTTP server binds to.
    pub host: String,
    /// The port the HTTP server binds to.
    pub port: i32,
    /// The region of the object storage.
    pub region: String,
    /// The contact point of the storage cluster.
    pub db_url: String,
    /// The datacenter that requests are routed within.
    pub db_dc: String,
    /// How many files of one request are processed at once.
    pub parallel_files: usize,
    /// How many rows of one bulk insert are in work at once.
    pub db_parallelism: usize,
    /// The path of the schema file.
    pub schema_file: String,
}

} // verus!
