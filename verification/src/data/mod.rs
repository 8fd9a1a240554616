//! The entities as callers see them, the documents they are ingested from,
//! and the shapes of the HTTP requests.

pub mod model;
pub mod rest_api;
pub mod source_model;
